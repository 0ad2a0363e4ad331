//! Feed items: the articles that RSS and Atom feeds hold, and the light-weight markup
//! scanner that finds them.

use vstd::prelude::*;
use vstd::string::StringExecFns;

use crate::text::{
    append_chars, append_decimal, append_str, option_view, take_first, char_views, chars_of, collapse_whitespace,
    collapse_ws, contains_seq, decimal, find_from, find_in, keep_some,
    lemma_collapse_ws_single_spaced, lemma_find_from, lemma_keep_some_elements, occurs_at,
    replace_all, replace_str, single_spaced, string_views, sub_chars, to_string, to_strings,
};

verus! {

/// The blocks of `s` that start with `open` and end with `close`, scanning from `pos`: each
/// block runs from the first `open` to the first `close` that begins at or after it, and the
/// scan goes on after that block; it stops where either marker is missing.
pub open spec fn blocks_from(s: Seq<char>, open: Seq<char>, close: Seq<char>, pos: int) -> Seq<
    Seq<char>,
>
    recommends
        close.len() > 0,
    decreases s.len() + 1 - pos,
{
    if pos < 0 || close.len() == 0 {
        seq![]
    } else {
        match find_from(s, open, pos) {
            None => seq![],
            Some(a) => match find_from(s, close, a) {
                None => seq![],
                Some(b) => {
                    proof {
                        lemma_find_from(s, open, pos);
                        lemma_find_from(s, close, a);
                    }
                    seq![s.subrange(a, b + close.len())] + blocks_from(
                        s,
                        open,
                        close,
                        b + close.len(),
                    )
                },
            },
        }
    }
}

/// The blocks of `s` that start with `open` and end with `close`.
pub open spec fn blocks(s: Seq<char>, open: Seq<char>, close: Seq<char>) -> Seq<Seq<char>> {
    blocks_from(s, open, close, 0)
}

/// The blocks of `s` that start with `open` and end with `close`.
pub fn find_block_chars(s: &[char], open: &[char], close: &[char]) -> (r: Vec<Vec<char>>)
    requires
        close@.len() > 0,
    ensures
        char_views(r@) == blocks(s@, open@, close@),
{
    let mut out: Vec<Vec<char>> = Vec::new();
    let mut pos: usize = 0;
    loop
        invariant
            pos <= s@.len(),
            s@.len() == s.len(),
            close@.len() > 0,
            blocks(s@, open@, close@) == char_views(out@) + blocks_from(
                s@,
                open@,
                close@,
                pos as int,
            ),
        decreases s@.len() + 1 - pos,
    {
        proof {
            lemma_find_from(s@, open@, pos as int);
        }
        let a = match find_in(s, open, pos) {
            Some(a) => a,
            None => {
                assert(char_views(out@) + blocks_from(s@, open@, close@, pos as int)
                    =~= char_views(out@));
                return out;
            },
        };
        proof {
            lemma_find_from(s@, close@, a as int);
        }
        let b = match find_in(s, close, a) {
            Some(b) => b,
            None => {
                assert(char_views(out@) + blocks_from(s@, open@, close@, pos as int)
                    =~= char_views(out@));
                return out;
            },
        };
        let end = b + close.len();
        let block = sub_chars(s, a, end);
        let ghost before = char_views(out@);
        out.push(block);
        assert(char_views(out@) =~= before.push(s@.subrange(a as int, end as int)));
        assert(before + blocks_from(s@, open@, close@, pos as int) =~= char_views(out@)
            + blocks_from(s@, open@, close@, end as int));
        pos = end;
    }
}

/// The blocks of `content` that start with `start_marker` and end with `end_marker`, in order.
pub fn find_blocks(content: &str, start_marker: &str, end_marker: &str) -> (r: Vec<String>)
    requires
        end_marker@.len() > 0,
    ensures
        string_views(r@) == blocks(content@, start_marker@, end_marker@),
{
    let s = chars_of(content);
    let o = chars_of(start_marker);
    let c = chars_of(end_marker);
    let bs = find_block_chars(s.as_slice(), o.as_slice(), c.as_slice());
    to_strings(&bs)
}


/// The text of the first `tag` element of `s`: from just after the `>` that closes the first
/// `<tag` up to the next `</tag>`.
pub open spec fn tag_text(s: Seq<char>, tag: Seq<char>) -> Option<Seq<char>> {
    match find_from(s, seq!['<'] + tag, 0) {
        None => None,
        Some(a) => match find_from(s, seq!['>'], a) {
            None => None,
            Some(c) => match find_from(s, seq!['<', '/'] + tag + seq!['>'], c + 1) {
                None => None,
                Some(e) => Some(s.subrange(c + 1, e)),
            },
        },
    }
}

/// The text of the first `tag` element of `s`.
pub fn tag_text_chars(s: &[char], tag: &[char]) -> (r: Option<Vec<char>>)
    ensures
        r matches Some(v) ==> tag_text(s@, tag@) == Some(v@),
        r is None ==> tag_text(s@, tag@) is None,
{
    let mut open: Vec<char> = Vec::new();
    open.push('<');
    append_chars(&mut open, tag);
    let mut close: Vec<char> = Vec::new();
    close.push('<');
    close.push('/');
    append_chars(&mut close, tag);
    close.push('>');
    let mut gt: Vec<char> = Vec::new();
    gt.push('>');
    assert(open@ =~= seq!['<'] + tag@);
    assert(close@ =~= seq!['<', '/'] + tag@ + seq!['>']);
    assert(gt@ =~= seq!['>']);
    proof {
        lemma_find_from(s@, open@, 0);
    }
    let a = find_in(s, open.as_slice(), 0)?;
    proof {
        lemma_find_from(s@, gt@, a as int);
    }
    let c = find_in(s, gt.as_slice(), a)?;
    let n = s.len();
    assert(c + 1 <= n);
    let e = find_in(s, close.as_slice(), c + 1)?;
    proof {
        lemma_find_from(s@, close@, c + 1);
    }
    Some(sub_chars(s, c + 1, e))
}

/// The text of the first `tag` element of `content`, as it stands there.
pub fn extract_tag_text(content: &str, tag: &str) -> (r: Option<String>)
    ensures
        r matches Some(t) ==> tag_text(content@, tag@) == Some(t@),
        r is None ==> tag_text(content@, tag@) is None,
{
    let s = chars_of(content);
    let t = chars_of(tag);
    let v = tag_text_chars(s.as_slice(), t.as_slice())?;
    Some(to_string(&v))
}

/// The value of the attribute `attr` in the markup `tag`: the text between the quotes after
/// the first `attr="`, or, where there is none, after the first `attr='`.
pub open spec fn attribute(tag: Seq<char>, attr: Seq<char>) -> Option<Seq<char>> {
    let dq = attr + seq!['=', '"'];
    let sq = attr + seq!['=', '\''];
    match find_from(tag, dq, 0) {
        Some(i) => match find_from(tag, seq!['"'], i + dq.len()) {
            Some(e) => Some(tag.subrange(i + dq.len(), e)),
            None => None,
        },
        None => match find_from(tag, sq, 0) {
            Some(i) => match find_from(tag, seq!['\''], i + sq.len()) {
                Some(e) => Some(tag.subrange(i + sq.len(), e)),
                None => None,
            },
            None => None,
        },
    }
}

/// The value of the attribute `attr` in the markup `tag`.
pub fn attribute_chars(tag: &[char], attr: &[char]) -> (r: Option<Vec<char>>)
    ensures
        r matches Some(v) ==> attribute(tag@, attr@) == Some(v@),
        r is None ==> attribute(tag@, attr@) is None,
{
    let mut dq: Vec<char> = Vec::new();
    append_chars(&mut dq, attr);
    dq.push('=');
    dq.push('"');
    let mut sq: Vec<char> = Vec::new();
    append_chars(&mut sq, attr);
    sq.push('=');
    sq.push('\'');
    let mut dquote: Vec<char> = Vec::new();
    dquote.push('"');
    let mut squote: Vec<char> = Vec::new();
    squote.push('\'');
    assert(dq@ =~= attr@ + seq!['=', '"']);
    assert(sq@ =~= attr@ + seq!['=', '\'']);
    assert(dquote@ =~= seq!['"']);
    assert(squote@ =~= seq!['\'']);
    proof {
        lemma_find_from(tag@, dq@, 0);
        lemma_find_from(tag@, sq@, 0);
    }
    let n = tag.len();
    if let Some(i) = find_in(tag, dq.as_slice(), 0) {
        assert(i + dq@.len() <= n);
        let start = i + dq.len();
        let e = find_in(tag, dquote.as_slice(), start)?;
        proof {
            lemma_find_from(tag@, dquote@, start as int);
        }
        return Some(sub_chars(tag, start, e));
    }
    if let Some(i) = find_in(tag, sq.as_slice(), 0) {
        assert(i + sq@.len() <= n);
        let start = i + sq.len();
        let e = find_in(tag, squote.as_slice(), start)?;
        proof {
            lemma_find_from(tag@, squote@, start as int);
        }
        return Some(sub_chars(tag, start, e));
    }
    None
}

/// The value of the attribute `attribute` in the markup `tag`.
pub fn extract_attribute(tag: &str, attribute: &str) -> (r: Option<String>)
    ensures
        r matches Some(t) ==> self::attribute(tag@, attribute@) == Some(t@),
        r is None ==> self::attribute(tag@, attribute@) is None,
{
    let t = chars_of(tag);
    let a = chars_of(attribute);
    let v = attribute_chars(t.as_slice(), a.as_slice())?;
    Some(to_string(&v))
}


/// The `<link` marker.
pub open spec fn link_open() -> Seq<char> {
    seq!['<', 'l', 'i', 'n', 'k']
}

/// A `<link ...>` markup that points at the entry itself: it has an `href` and either
/// names the relation `alternate` or names none.
pub open spec fn is_alternate_link(tag: Seq<char>) -> bool {
    &&& attribute(tag, "href"@) is Some
    &&& {
        ||| contains_seq(tag, "rel=\"alternate\""@)
        ||| contains_seq(tag, "rel='alternate'"@)
        ||| !contains_seq(tag, "rel="@)
    }
}

/// The link of an Atom entry, scanning its `<link ...>` markups from `pos`: the `href` of
/// the first one that points at the entry itself; none where a `<link` has no closing `>`.
pub open spec fn atom_link_from(s: Seq<char>, pos: int) -> Option<Seq<char>>
    decreases s.len() + 1 - pos,
{
    if pos < 0 {
        None
    } else {
        match find_from(s, link_open(), pos) {
            None => None,
            Some(l) => match find_from(s, seq!['>'], l) {
                None => None,
                Some(t) => {
                    proof {
                        lemma_find_from(s, link_open(), pos);
                        lemma_find_from(s, seq!['>'], l);
                        assert(s.subrange(l, l + 5)[0] == '<');
                        assert(s.subrange(t, t + 1)[0] == '>');
                    }
                    if is_alternate_link(s.subrange(l, t)) {
                        attribute(s.subrange(l, t), "href"@)
                    } else {
                        atom_link_from(s, t)
                    }
                },
            },
        }
    }
}

/// The link of an Atom entry.
pub open spec fn atom_link(s: Seq<char>) -> Option<Seq<char>> {
    atom_link_from(s, 0)
}

/// Whether `p` occurs in `s`.
pub fn contains_str(s: &[char], p: &str) -> (r: bool)
    ensures
        r == contains_seq(s@, p@),
{
    let pc = chars_of(p);
    find_in(s, pc.as_slice(), 0).is_some()
}

/// The link of the Atom entry `s`.
pub fn atom_link_chars(s: &[char]) -> (r: Option<Vec<char>>)
    ensures
        r matches Some(v) ==> atom_link(s@) == Some(v@),
        r is None ==> atom_link(s@) is None,
{
    let mut open: Vec<char> = Vec::new();
    open.push('<');
    open.push('l');
    open.push('i');
    open.push('n');
    open.push('k');
    let mut gt: Vec<char> = Vec::new();
    gt.push('>');
    assert(open@ =~= link_open());
    assert(gt@ =~= seq!['>']);
    let href = chars_of("href");
    let n = s.len();
    let mut pos: usize = 0;
    loop
        invariant
            pos <= n == s@.len(),
            open@ == link_open(),
            gt@ == seq!['>'],
            href@ == "href"@,
            atom_link(s@) == atom_link_from(s@, pos as int),
        decreases n + 1 - pos,
    {
        proof {
            lemma_find_from(s@, open@, pos as int);
        }
        let l = find_in(s, open.as_slice(), pos)?;
        proof {
            lemma_find_from(s@, gt@, l as int);
            assert(s@.subrange(l as int, l + 5)[0] == '<');
        }
        let t = find_in(s, gt.as_slice(), l)?;
        assert(s@.subrange(t as int, t + 1)[0] == '>');
        let tag = sub_chars(s, l, t);
        if let Some(v) = attribute_chars(tag.as_slice(), href.as_slice()) {
            if contains_str(tag.as_slice(), "rel=\"alternate\"") || contains_str(
                tag.as_slice(),
                "rel='alternate'",
            ) || !contains_str(tag.as_slice(), "rel=") {
                return Some(v);
            }
        }
        pos = t;
    }
}

/// The link of the Atom entry `entry`: the `href` of its first `<link ...>` markup that has
/// one and names the relation `alternate` or none.
pub fn extract_atom_link(entry: &str) -> (r: Option<String>)
    ensures
        r matches Some(t) ==> atom_link(entry@) == Some(t@),
        r is None ==> atom_link(entry@) is None,
{
    let s = chars_of(entry);
    let v = atom_link_chars(s.as_slice())?;
    Some(to_string(&v))
}


/// `s` with the CDATA markers removed and the five predefined XML entities decoded, one
/// after another, in the order `&amp;`, `&quot;`, `&apos;`, `&lt;`, `&gt;`.
pub open spec fn decode_markup(s: Seq<char>) -> Seq<char> {
    let s1 = replace_all(s, "<![CDATA["@, seq![]);
    let s2 = replace_all(s1, "]]>"@, seq![]);
    let s3 = replace_all(s2, "&amp;"@, "&"@);
    let s4 = replace_all(s3, "&quot;"@, "\""@);
    let s5 = replace_all(s4, "&apos;"@, "'"@);
    let s6 = replace_all(s5, "&lt;"@, "<"@);
    replace_all(s6, "&gt;"@, ">"@)
}

/// Feed text made readable: markup decoded, then its words joined by single spaces.
pub open spec fn clean(s: Seq<char>) -> Seq<char> {
    collapse_ws(decode_markup(s))
}

/// `s` made readable.
pub fn clean_chars(s: &[char]) -> (v: Vec<char>)
    ensures
        v@ == clean(s@),
{
    proof {
        reveal_strlit("<![CDATA[");
        reveal_strlit("]]>");
        reveal_strlit("&amp;");
        reveal_strlit("&quot;");
        reveal_strlit("&apos;");
        reveal_strlit("&lt;");
        reveal_strlit("&gt;");
        reveal_strlit("");
    }
    let s1 = replace_str(s, "<![CDATA[", "");
    assert(""@ =~= Seq::<char>::empty());
    let s2 = replace_str(s1.as_slice(), "]]>", "");
    let s3 = replace_str(s2.as_slice(), "&amp;", "&");
    let s4 = replace_str(s3.as_slice(), "&quot;", "\"");
    let s5 = replace_str(s4.as_slice(), "&apos;", "'");
    let s6 = replace_str(s5.as_slice(), "&lt;", "<");
    let s7 = replace_str(s6.as_slice(), "&gt;", ">");
    collapse_whitespace(s7.as_slice())
}

/// `value` made readable: the CDATA markers removed, the predefined XML entities decoded
/// and the words joined by single spaces.
pub fn clean_text(value: &str) -> (r: String)
    ensures
        r@ == clean(value@),
{
    let s = chars_of(value);
    let v = clean_chars(s.as_slice());
    to_string(&v)
}


/// One collected news item.
pub struct Article {
    pub source_name: String,
    pub source_feed: String,
    pub title: String,
    pub url: String,
    pub summary: String,
}

/// The text of an `Article`'s fields.
pub struct ArticleView {
    pub source_name: Seq<char>,
    pub source_feed: Seq<char>,
    pub title: Seq<char>,
    pub url: Seq<char>,
    pub summary: Seq<char>,
}

impl View for Article {
    type V = ArticleView;

    open spec fn view(&self) -> ArticleView {
        ArticleView {
            source_name: self.source_name@,
            source_feed: self.source_feed@,
            title: self.title@,
            url: self.url@,
            summary: self.summary@,
        }
    }
}

impl Clone for Article {
    fn clone(&self) -> (r: Self)
        ensures
            r@ == self@,
    {
        Article {
            source_name: self.source_name.clone(),
            source_feed: self.source_feed.clone(),
            title: self.title.clone(),
            url: self.url.clone(),
            summary: self.summary.clone(),
        }
    }
}

/// The views of the articles.
pub open spec fn article_views(v: Seq<Article>) -> Seq<ArticleView> {
    Seq::new(v.len(), |i: int| v[i]@)
}

/// The article that an RSS `<item>` block describes, where it has a link.
pub open spec fn rss_article(name: Seq<char>, feed: Seq<char>, item: Seq<char>) -> Option<
    ArticleView,
> {
    match tag_text(item, "link"@) {
        None => None,
        Some(url) => Some(
            ArticleView {
                source_name: name,
                source_feed: feed,
                title: clean(
                    match tag_text(item, "title"@) {
                        Some(t) => t,
                        None => "Tanpa judul"@,
                    },
                ),
                url: clean(url),
                summary: clean(
                    match tag_text(item, "description"@) {
                        Some(d) => d,
                        None => match tag_text(item, "content:encoded"@) {
                            Some(c) => c,
                            None => seq![],
                        },
                    },
                ),
            },
        ),
    }
}

/// The article that an Atom `<entry>` block describes, where it has a link.
pub open spec fn atom_article(name: Seq<char>, feed: Seq<char>, entry: Seq<char>) -> Option<
    ArticleView,
> {
    match atom_link(entry) {
        None => None,
        Some(url) => Some(
            ArticleView {
                source_name: name,
                source_feed: feed,
                title: clean(
                    match tag_text(entry, "title"@) {
                        Some(t) => t,
                        None => "Tanpa judul"@,
                    },
                ),
                url: clean(url),
                summary: clean(
                    match tag_text(entry, "summary"@) {
                        Some(d) => d,
                        None => match tag_text(entry, "content"@) {
                            Some(c) => c,
                            None => seq![],
                        },
                    },
                ),
            },
        ),
    }
}

/// The articles of the RSS `<item>` blocks of `content` that have a link, in order.
pub open spec fn rss_articles(name: Seq<char>, feed: Seq<char>, content: Seq<char>) -> Seq<
    ArticleView,
> {
    keep_some(blocks(content, "<item"@, "</item>"@).map_values(|b| rss_article(name, feed, b)))
}

/// The articles of the Atom `<entry>` blocks of `content` that have a link, in order.
pub open spec fn atom_articles(name: Seq<char>, feed: Seq<char>, content: Seq<char>) -> Seq<
    ArticleView,
> {
    keep_some(blocks(content, "<entry"@, "</entry>"@).map_values(|b| atom_article(name, feed, b)))
}

/// The articles of a feed: its RSS items, or, where it has none, its Atom entries.
pub open spec fn feed_articles(name: Seq<char>, feed: Seq<char>, content: Seq<char>) -> Seq<
    ArticleView,
> {
    if rss_articles(name, feed, content).len() > 0 {
        rss_articles(name, feed, content)
    } else {
        atom_articles(name, feed, content)
    }
}

/// The text of `tag` in `s`, or `default` where `s` has no such element.
fn tag_text_or(s: &[char], tag: &str, default: &str) -> (v: Vec<char>)
    ensures
        v@ == match tag_text(s@, tag@) {
            Some(t) => t,
            None => default@,
        },
{
    let t = chars_of(tag);
    match tag_text_chars(s, t.as_slice()) {
        Some(v) => v,
        None => chars_of(default),
    }
}

/// The text of `first` in `s`, else that of `second`, else nothing.
fn tag_text_either(s: &[char], first: &str, second: &str) -> (v: Vec<char>)
    ensures
        v@ == match tag_text(s@, first@) {
            Some(d) => d,
            None => match tag_text(s@, second@) {
                Some(c) => c,
                None => seq![],
            },
        },
{
    let f = chars_of(first);
    match tag_text_chars(s, f.as_slice()) {
        Some(v) => v,
        None => {
            let c = chars_of(second);
            match tag_text_chars(s, c.as_slice()) {
                Some(v) => v,
                None => Vec::new(),
            }
        },
    }
}

/// The article that an RSS `<item>` block describes.
fn rss_item_article(source_name: &str, feed_url: &str, item: &[char]) -> (r: Option<Article>)
    ensures
        r matches Some(a) ==> rss_article(source_name@, feed_url@, item@) == Some(a@),
        r is None ==> rss_article(source_name@, feed_url@, item@) is None,
{
    let link = chars_of("link");
    let url = tag_text_chars(item, link.as_slice())?;
    let title = tag_text_or(item, "title", "Tanpa judul");
    let summary = tag_text_either(item, "description", "content:encoded");
    let t = clean_chars(title.as_slice());
    let u = clean_chars(url.as_slice());
    let m = clean_chars(summary.as_slice());
    Some(
        Article {
            source_name: String::from_str(source_name),
            source_feed: String::from_str(feed_url),
            title: to_string(&t),
            url: to_string(&u),
            summary: to_string(&m),
        },
    )
}

/// The article that an Atom `<entry>` block describes.
fn atom_entry_article(source_name: &str, feed_url: &str, entry: &[char]) -> (r: Option<Article>)
    ensures
        r matches Some(a) ==> atom_article(source_name@, feed_url@, entry@) == Some(a@),
        r is None ==> atom_article(source_name@, feed_url@, entry@) is None,
{
    let url = atom_link_chars(entry)?;
    let title = tag_text_or(entry, "title", "Tanpa judul");
    let summary = tag_text_either(entry, "summary", "content");
    let t = clean_chars(title.as_slice());
    let u = clean_chars(url.as_slice());
    let m = clean_chars(summary.as_slice());
    Some(
        Article {
            source_name: String::from_str(source_name),
            source_feed: String::from_str(feed_url),
            title: to_string(&t),
            url: to_string(&u),
            summary: to_string(&m),
        },
    )
}

/// The articles of the RSS items of `feed_content` that have a link, in order.
pub fn parse_rss_items(source_name: &str, feed_url: &str, feed_content: &str) -> (r: Vec<Article>)
    ensures
        article_views(r@) == rss_articles(source_name@, feed_url@, feed_content@),
{
    let s = chars_of(feed_content);
    let open = chars_of("<item");
    let close = chars_of("</item>");
    proof {
        reveal_strlit("</item>");
    }
    let bs = find_block_chars(s.as_slice(), open.as_slice(), close.as_slice());
    let ghost items = char_views(bs@).map_values(
        |b| rss_article(source_name@, feed_url@, b),
    );
    let mut out: Vec<Article> = Vec::new();
    let mut i: usize = 0;
    while i < bs.len()
        invariant
            i <= bs@.len(),
            items == char_views(bs@).map_values(|b| rss_article(source_name@, feed_url@, b)),
            article_views(out@) == keep_some(items.take(i as int)),
        decreases bs@.len() - i,
    {
        let r = rss_item_article(source_name, feed_url, bs[i].as_slice());
        assert(items.take(i + 1).drop_last() =~= items.take(i as int));
        assert(items.take(i + 1).last() == items[i as int]);
        if let Some(a) = r {
            out.push(a);
        }
        i = i + 1;
        assert(article_views(out@) =~= keep_some(items.take(i as int)));
    }
    assert(items.take(i as int) =~= items);
    out
}

/// The articles of the Atom entries of `feed_content` that have a link, in order.
pub fn parse_atom_entries(source_name: &str, feed_url: &str, feed_content: &str) -> (r: Vec<
    Article,
>)
    ensures
        article_views(r@) == atom_articles(source_name@, feed_url@, feed_content@),
{
    let s = chars_of(feed_content);
    let open = chars_of("<entry");
    let close = chars_of("</entry>");
    proof {
        reveal_strlit("</entry>");
    }
    let bs = find_block_chars(s.as_slice(), open.as_slice(), close.as_slice());
    let ghost items = char_views(bs@).map_values(
        |b| atom_article(source_name@, feed_url@, b),
    );
    let mut out: Vec<Article> = Vec::new();
    let mut i: usize = 0;
    while i < bs.len()
        invariant
            i <= bs@.len(),
            items == char_views(bs@).map_values(|b| atom_article(source_name@, feed_url@, b)),
            article_views(out@) == keep_some(items.take(i as int)),
        decreases bs@.len() - i,
    {
        let r = atom_entry_article(source_name, feed_url, bs[i].as_slice());
        assert(items.take(i + 1).drop_last() =~= items.take(i as int));
        assert(items.take(i + 1).last() == items[i as int]);
        if let Some(a) = r {
            out.push(a);
        }
        i = i + 1;
        assert(article_views(out@) =~= keep_some(items.take(i as int)));
    }
    assert(items.take(i as int) =~= items);
    out
}

/// The articles of a feed: its RSS items, or, where it has none, its Atom entries.
pub fn parse_feed_articles(source_name: &str, feed_url: &str, feed_content: &str) -> (r: Vec<
    Article,
>)
    ensures
        article_views(r@) == feed_articles(source_name@, feed_url@, feed_content@),
{
    let articles = parse_rss_items(source_name, feed_url, feed_content);
    if articles.len() == 0 {
        parse_atom_entries(source_name, feed_url, feed_content)
    } else {
        articles
    }
}


/// A feed that the radar reads.
pub struct RssSource {
    pub name: &'static str,
    pub url: &'static str,
}

/// The names and addresses of the feeds that the radar reads, in the order it reads them.
pub open spec fn rss_source_list() -> Seq<(Seq<char>, Seq<char>)> {
    seq![
        ("TLDR AI"@, "https://ai.tldr.tech/rss"@),
        ("The Rundown AI"@, "https://www.therundown.ai/feed"@),
        ("The New Stack"@, "https://thenewstack.io/feed/"@),
        ("InfoQ"@, "https://www.infoq.com/feed/"@),
        ("Lenny's Newsletter"@, "https://www.lennysnewsletter.com/feed"@),
    ]
}

/// The feeds that the radar reads.
pub fn rss_sources() -> (r: Vec<RssSource>)
    ensures
        r@.len() == rss_source_list().len(),
        forall|i: int|
            0 <= i < r@.len() ==> (#[trigger] r@[i].name@, r@[i].url@) == rss_source_list()[i],
{
    let mut v: Vec<RssSource> = Vec::new();
    v.push(RssSource { name: "TLDR AI", url: "https://ai.tldr.tech/rss" });
    v.push(RssSource { name: "The Rundown AI", url: "https://www.therundown.ai/feed" });
    v.push(RssSource { name: "The New Stack", url: "https://thenewstack.io/feed/" });
    v.push(RssSource { name: "InfoQ", url: "https://www.infoq.com/feed/" });
    v.push(RssSource { name: "Lenny's Newsletter", url: "https://www.lennysnewsletter.com/feed" });
    v
}

/// GitHub Trending offers no stable feed or API, so it contributes no articles.
pub fn collect_github_trending_placeholder() -> (r: Vec<Article>)
    ensures
        r@.len() == 0,
{
    Vec::new()
}

/// The Hacker News top-stories endpoint.
pub const HACKER_NEWS_TOP_STORIES_URL: &'static str = "https://hacker-news.firebaseio.com/v0/topstories.json";

/// How many of the top stories the radar reads.
pub const HACKER_NEWS_ITEM_LIMIT: usize = 10;

/// The article for a Hacker News story, from the story's id and the title, link and score
/// that the item holds.
pub open spec fn hacker_news_story(
    story_id: u64,
    title: Option<Seq<char>>,
    url: Option<Seq<char>>,
    score: Option<u64>,
) -> ArticleView {
    ArticleView {
        source_name: "Hacker News"@,
        source_feed: HACKER_NEWS_TOP_STORIES_URL@,
        title: clean(
            match title {
                Some(t) => t,
                None => "Untitled Hacker News item"@,
            },
        ),
        url: clean(
            match url {
                Some(u) => u,
                None => "https://news.ycombinator.com/item?id="@ + decimal(story_id as nat),
            },
        ),
        summary: "Hacker News top story with score "@ + decimal(
            match score {
                Some(n) => n as nat,
                None => 0,
            },
        ) + "."@,
    }
}

/// The article for a Hacker News story.
pub fn hacker_news_article(
    story_id: u64,
    title: Option<String>,
    url: Option<String>,
    score: Option<u64>,
) -> (r: Article)
    ensures
        r@ == hacker_news_story(
            story_id,
            match title {
                Some(t) => Some(t@),
                None => None,
            },
            match url {
                Some(u) => Some(u@),
                None => None,
            },
            score,
        ),
{
    let t = match &title {
        Some(t) => chars_of(t.as_str()),
        None => chars_of("Untitled Hacker News item"),
    };
    let u = match &url {
        Some(u) => chars_of(u.as_str()),
        None => {
            let mut v = chars_of("https://news.ycombinator.com/item?id=");
            append_decimal(&mut v, story_id);
            v
        },
    };
    let mut summary = chars_of("Hacker News top story with score ");
    let n = match score {
        Some(n) => n,
        None => 0,
    };
    append_decimal(&mut summary, n);
    append_str(&mut summary, ".");
    let ct = clean_chars(t.as_slice());
    let cu = clean_chars(u.as_slice());
    Article {
        source_name: String::from_str("Hacker News"),
        source_feed: String::from_str(HACKER_NEWS_TOP_STORIES_URL),
        title: to_string(&ct),
        url: to_string(&cu),
        summary: to_string(&summary),
    }
}


/// Cleaned feed text has single spaces only between words: no white space at either end,
/// none twice in a row, and no tab or line break.
pub proof fn lemma_clean_single_spaced(s: Seq<char>)
    ensures
        single_spaced(clean(s)),
{
    lemma_collapse_ws_single_spaced(decode_markup(s));
}

/// The end marker cannot begin inside a start marker: at each offset of the start marker
/// some character of the end marker differs from it.
pub open spec fn markers_apart(open: Seq<char>, close: Seq<char>) -> bool {
    forall|k: int| 0 <= k < open.len() ==> #[trigger] mismatch_at(open, close, k)
}

/// Some character of the end marker differs from the start marker at offset `k`.
pub open spec fn mismatch_at(open: Seq<char>, close: Seq<char>, k: int) -> bool {
    exists|i: int| 0 <= i < close.len() && k + i < open.len() && #[trigger] close[i] != open[k + i]
}

/// Each block found starts with the start marker and ends with the end marker, where the end
/// marker cannot begin inside a start marker.
pub proof fn lemma_blocks_delimited(s: Seq<char>, open: Seq<char>, close: Seq<char>, pos: int)
    requires
        close.len() > 0,
        markers_apart(open, close),
        0 <= pos,
    ensures
        forall|j: int|
            0 <= j < blocks_from(s, open, close, pos).len() ==> {
                let b = #[trigger] blocks_from(s, open, close, pos)[j];
                &&& occurs_at(b, open, 0)
                &&& b.len() >= close.len()
                &&& occurs_at(b, close, b.len() - close.len())
            },
    decreases s.len() + 1 - pos,
{
    lemma_find_from(s, open, pos);
    if let Some(a) = find_from(s, open, pos) {
        lemma_find_from(s, close, a);
        if let Some(b) = find_from(s, close, a) {
            let e = b + close.len();
            lemma_blocks_delimited(s, open, close, e);
            let blk = s.subrange(a, e);
            let rest = blocks_from(s, open, close, e);
            assert(blocks_from(s, open, close, pos) == seq![blk] + rest);
            if b < a + open.len() {
                let k = b - a;
                assert(mismatch_at(open, close, k));
                let i = choose|i: int|
                    0 <= i < close.len() && k + i < open.len() && #[trigger] close[i] != open[k + i];
                assert(s.subrange(a, a + open.len())[k + i] == s.subrange(b, e)[i]);
            }
            assert(blk.subrange(0, open.len() as int) =~= s.subrange(a, a + open.len()));
            assert(blk.subrange(blk.len() - close.len(), blk.len() as int) =~= s.subrange(b, e));
            assert forall|j: int| 0 <= j < blocks_from(s, open, close, pos).len() implies {
                let bb = #[trigger] blocks_from(s, open, close, pos)[j];
                &&& occurs_at(bb, open, 0)
                &&& bb.len() >= close.len()
                &&& occurs_at(bb, close, bb.len() - close.len())
            } by {
                if j > 0 {
                    assert(blocks_from(s, open, close, pos)[j] == rest[j - 1]);
                }
            }
        }
    }
}

/// Each RSS `<item>` block starts with `<item` and ends with `</item>`, and each Atom
/// `<entry>` block starts with `<entry` and ends with `</entry>`.
pub proof fn lemma_feed_blocks_delimited(s: Seq<char>)
    ensures
        forall|j: int|
            0 <= j < blocks(s, "<item"@, "</item>"@).len() ==> {
                let b = #[trigger] blocks(s, "<item"@, "</item>"@)[j];
                &&& occurs_at(b, "<item"@, 0)
                &&& b.len() >= 7
                &&& occurs_at(b, "</item>"@, b.len() - 7)
            },
        forall|j: int|
            0 <= j < blocks(s, "<entry"@, "</entry>"@).len() ==> {
                let b = #[trigger] blocks(s, "<entry"@, "</entry>"@)[j];
                &&& occurs_at(b, "<entry"@, 0)
                &&& b.len() >= 8
                &&& occurs_at(b, "</entry>"@, b.len() - 8)
            },
{
    reveal_strlit("<item");
    reveal_strlit("</item>");
    reveal_strlit("<entry");
    reveal_strlit("</entry>");
    let (oi, ci) = ("<item"@, "</item>"@);
    let (oe, ce) = ("<entry"@, "</entry>"@);
    assert forall|k: int| 0 <= k < oi.len() implies #[trigger] mismatch_at(oi, ci, k) by {
        if k == 0 {
            assert(oi[1] != ci[1]);
        } else {
            assert(oi[k] != ci[0]);
        }
    }
    assert forall|k: int| 0 <= k < oe.len() implies #[trigger] mismatch_at(oe, ce, k) by {
        if k == 0 {
            assert(oe[1] != ce[1]);
        } else {
            assert(oe[k] != ce[0]);
        }
    }
    lemma_blocks_delimited(s, oi, ci, 0);
    lemma_blocks_delimited(s, oe, ce, 0);
}

/// Every article of a feed carries the feed's name and address.
pub proof fn lemma_feed_articles_carry_source(name: Seq<char>, feed: Seq<char>, content: Seq<char>)
    ensures
        forall|j: int|
            0 <= j < feed_articles(name, feed, content).len() ==> (#[trigger] feed_articles(
                name,
                feed,
                content,
            )[j]).source_name == name && feed_articles(name, feed, content)[j].source_feed
                == feed,
{
    let rs = blocks(content, "<item"@, "</item>"@).map_values(|b| rss_article(name, feed, b));
    let es = blocks(content, "<entry"@, "</entry>"@).map_values(|b| atom_article(name, feed, b));
    lemma_keep_some_elements(rs);
    lemma_keep_some_elements(es);
    assert forall|j: int| 0 <= j < feed_articles(name, feed, content).len() implies (
    #[trigger] feed_articles(name, feed, content)[j]).source_name == name && feed_articles(
        name,
        feed,
        content,
    )[j].source_feed == feed by {
        let x = feed_articles(name, feed, content)[j];
        if rss_articles(name, feed, content).len() > 0 {
            let i = choose|i: int| 0 <= i < rs.len() && rs[i] == Some(keep_some(rs)[j]);
        } else {
            let i = choose|i: int| 0 <= i < es.len() && es[i] == Some(keep_some(es)[j]);
        }
    }
}


/// The link of an RSS item is made readable as its title is, by what `clean_text` does: the
/// article's URL is `clean_text` of the link's text, and where the title and the link hold the
/// same text, the article's title and URL are the same.
pub proof fn lemma_rss_link_cleaned_like_title(name: Seq<char>, feed: Seq<char>, item: Seq<char>)
    requires
        tag_text(item, "link"@) is Some,
    ensures
        rss_article(name, feed, item) is Some,
        rss_article(name, feed, item)->0.url == clean(tag_text(item, "link"@)->0),
        tag_text(item, "title"@) == tag_text(item, "link"@) ==> rss_article(name, feed, item)->0.title
            == rss_article(name, feed, item)->0.url,
{
}

/// The link of an Atom entry is made readable as its title is: the article's URL is
/// `clean_text` of the link, and where the title's text is the link, the article's title and
/// URL are the same.
pub proof fn lemma_atom_link_cleaned_like_title(name: Seq<char>, feed: Seq<char>, entry: Seq<char>)
    requires
        atom_link(entry) is Some,
    ensures
        atom_article(name, feed, entry) is Some,
        atom_article(name, feed, entry)->0.url == clean(atom_link(entry)->0),
        tag_text(entry, "title"@) == atom_link(entry) ==> atom_article(name, feed, entry)->0.title
            == atom_article(name, feed, entry)->0.url,
{
}

/// One Hacker News item as the API returns it: the fields the radar reads.
pub struct HackerNewsItem {
    pub title: Option<String>,
    pub url: Option<String>,
    pub score: Option<u64>,
}

/// The text and numbers of a `HackerNewsItem`.
pub struct HackerNewsItemView {
    pub title: Option<Seq<char>>,
    pub url: Option<Seq<char>>,
    pub score: Option<u64>,
}

impl View for HackerNewsItem {
    type V = HackerNewsItemView;

    open spec fn view(&self) -> HackerNewsItemView {
        HackerNewsItemView {
            title: option_view(self.title),
            url: option_view(self.url),
            score: self.score,
        }
    }
}

/// The stories whose items the radar reads: the first ten of the top stories, in order.
pub fn hacker_news_story_selection(story_ids: &[u64]) -> (r: Vec<u64>)
    ensures
        r@ == take_first(story_ids@, HACKER_NEWS_ITEM_LIMIT as nat),
{
    let mut out: Vec<u64> = Vec::new();
    let mut i: usize = 0;
    while i < story_ids.len() && i < HACKER_NEWS_ITEM_LIMIT
        invariant
            i <= story_ids@.len(),
            i <= HACKER_NEWS_ITEM_LIMIT,
            out@ == story_ids@.take(i as int),
        decreases story_ids@.len() - i,
    {
        out.push(story_ids[i]);
        i = i + 1;
        assert(out@ =~= story_ids@.take(i as int));
    }
    assert(out@ =~= take_first(story_ids@, HACKER_NEWS_ITEM_LIMIT as nat));
    out
}

/// The Hacker News articles of a run, from the top stories (none where they could not be
/// read) and the items fetched for the selected stories, in order, each none where it could
/// not be read: one article per selected story where every item was read, else none at all.
pub open spec fn hacker_news_stories(
    story_ids: Option<Seq<u64>>,
    items: Seq<Option<HackerNewsItemView>>,
) -> Seq<ArticleView> {
    match story_ids {
        None => seq![],
        Some(ids) => {
            let chosen = take_first(ids, HACKER_NEWS_ITEM_LIMIT as nat);
            if items.len() == chosen.len() && forall|i: int| 0 <= i < items.len() ==> #[trigger] items[i] is Some {
                Seq::new(
                    chosen.len(),
                    |i: int|
                        hacker_news_story(
                            chosen[i],
                            items[i]->0.title,
                            items[i]->0.url,
                            items[i]->0.score,
                        ),
                )
            } else {
                seq![]
            }
        },
    }
}

/// The views of the fetched items.
pub open spec fn item_views(items: Seq<Option<HackerNewsItem>>) -> Seq<Option<HackerNewsItemView>> {
    items.map_values(|o: Option<HackerNewsItem>| match o {
        Some(it) => Some(it@),
        None => None,
    })
}

fn clone_text(o: &Option<String>) -> (r: Option<String>)
    ensures
        option_view(r) == option_view(*o),
{
    match o {
        Some(t) => Some(t.clone()),
        None => None,
    }
}

/// The Hacker News articles of a run: one per selected story where the top stories and every
/// selected item were read, else none.
pub fn hacker_news_articles(story_ids: Option<Vec<u64>>, items: Vec<Option<HackerNewsItem>>) -> (r:
    Vec<Article>)
    ensures
        article_views(r@) == hacker_news_stories(
            match story_ids {
                Some(ids) => Some(ids@),
                None => None,
            },
            item_views(items@),
        ),
{
    let ghost views = item_views(items@);
    let ids = match story_ids {
        Some(ids) => ids,
        None => {
            let none: Vec<Article> = Vec::new();
            assert(article_views(none@) =~= Seq::<ArticleView>::empty());
            return none;
        },
    };
    let chosen = hacker_news_story_selection(ids.as_slice());
    if items.len() != chosen.len() {
        let none: Vec<Article> = Vec::new();
        assert(article_views(none@) =~= Seq::<ArticleView>::empty());
        return none;
    }
    let mut out: Vec<Article> = Vec::new();
    let mut i: usize = 0;
    while i < items.len()
        invariant
            i <= items@.len() == chosen@.len(),
            views == item_views(items@),
            forall|j: int| 0 <= j < i ==> #[trigger] views[j] is Some,
            article_views(out@) == Seq::new(
                i as nat,
                |j: int| hacker_news_story(chosen@[j], views[j]->0.title, views[j]->0.url, views[j]->0.score),
            ),
        decreases items@.len() - i,
    {
        match &items[i] {
            Some(item) => {
                let a = hacker_news_article(
                    chosen[i],
                    clone_text(&item.title),
                    clone_text(&item.url),
                    item.score,
                );
                let ghost prev = article_views(out@);
                out.push(a);
                assert(views[i as int] == Some(item@));
                assert(article_views(out@) =~= prev.push(a@));
                i = i + 1;
                assert(article_views(out@) =~= Seq::new(
                    i as nat,
                    |j: int| hacker_news_story(chosen@[j], views[j]->0.title, views[j]->0.url, views[j]->0.score),
                ));
            },
            None => {
                assert(views[i as int] is None);
                let none: Vec<Article> = Vec::new();
                assert(article_views(none@) =~= Seq::<ArticleView>::empty());
                return none;
            },
        }
    }
    assert(article_views(out@) =~= hacker_news_stories(Some(ids@), views));
    out
}

} // verus!
